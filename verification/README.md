# Nuvi

Nuvi is a Neovim GUI for macOS. Each workspace tab runs a Neovim process of its
own.

`src/` is the core of it, written in Verus: executable Rust with contracts that
are proved.

| Module | What it holds |
| --- | --- |
| `text` | Text handling, and the compact strings of grid cells |
| `value` | Values of Neovim's remote procedure calls |
| `grid` | The cell buffer: resizing, writing lines, scrolling regions |
| `ui` | The user interface that Neovim describes, and its redraw events |
| `scrolling` | Moves of the grid's contents that are shown smoothly |
| `paint` | What is drawn for rows of cells, the moving region, and the cursor |
| `fonts` | The `guifont` option and the fonts to use |
| `keys` | Key presses and mouse buttons in Neovim's notation |
| `paths` | Paths in the file system |
| `nvim` | Finding and starting Neovim, requests to it, and its reports |
| `delivery` | The order in which requests reach Neovim |
| `shell` | The user's shell and the search path that it reports |
| `editor` | One editor: its state and how events change it |
| `recents` | The folders that were opened last |
| `workspace` | A window with tabs, and what is to be done for it |

`app/` is the program around it: the process and its connection, drawing with
GPUI, files, and everything that computes with floating point numbers. It hands
plain values to the core and does what the core says is to be done.

Laws that relate several functions are public proof functions whose names start
with `law_`.
