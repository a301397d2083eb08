# galncelet

The logic of the Galncelet desktop widgets (a Tauri app for Windows), as a library
verified with Verus, and the desktop app around it.

- `src/` — the verified library. Each module states its behaviour in `requires` /
  `ensures` over spec functions and views, and proves it:
  - `git` — parsing `git status`, branch lists, logs, submodules and diffs; command
    outcomes; the branch order.
  - `lyrics`, `music` — LRC parsing, lyric sources, the lyric cache, the media poll
    (track changes, position estimate, cover image) and media commands.
  - `clipboard` — the clipboard history and its monitor.
  - `window_attach` — which widgets follow the foreground window and where they go.
  - `page_notes` — note rules matched against browser addresses, and the WebSocket
    protocol of the browser extension.
  - `runtime_addons` — add-on ids, storage keys, manifest checks, listing order.
  - `settings`, `startup` — global shortcuts, the widget sequence, start-up launchers,
    which windows open at start, the tray menu.
  - `amkr`, `updater`, `system_monitor`, `browser_ext` — the model router client, update
    checks, metric selection, browser launch and repository watching decisions.
  - `json` — what a parsed JSON reply holds where the app reads it.
  - `text`, `strmap` — strings and a small string-keyed map with their specifications.
- `tests/` — tests of the library on concrete values.
- `app/` — the Tauri app: windows, commands, file and network I/O, Windows APIs, and
  the floating-point metrics. It hands the library what its I/O returned and acts on
  what the library decides.
