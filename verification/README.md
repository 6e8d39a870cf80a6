# Ninja

Ninja is a host for a terminal: windows, tabs and split panes around a terminal engine, and plugins
that run as processes of their own and talk to it over a socket. A click on a path or an address is
told to the plugins; where none takes it, it is opened as the system does.

The library in `src/` is the host's logic, verified with Verus:

| Module | What it holds |
| --- | --- |
| `protocol`, `protocol::frame` | messages, the version gate, length-prefixed frames |
| `plugins` | the supervisor, arbitration of hits, layers, granted keys, colours, sessions |
| `link`, `url`, `open` | links in a row of cells, percent-decoding, what is opened |
| `config` | the host's TOML, the layers of the terminal's configuration, key bindings, the dump |
| `pane`, `pane::tree` | split panes: the tree, focus, zoom, saved layouts |
| `host`, `menu`, `panel`, `notify` | actions of the terminal, menus, the settings window, notifications |
| `atlas`, `font` | the glyph atlas and the slots of fallback fonts |
| `keymap`, `clipboard`, `palette`, `embed`, `layer`, `text` | the rest |

`app/` is ordinary Rust around it: sockets, processes, files, JSON, and geometry in floating point. It
keeps a window that it does not draw.

Functions of other crates and of the standard library that the logic calls stand behind declarations
that say what is taken to hold of them: `config/document.rs` for `toml`, `plugins/layers.rs` for
`serde_json`, and `url.rs`, `text.rs`, `config/keys.rs` and `plugins/hit.rs` for strings and
characters.
