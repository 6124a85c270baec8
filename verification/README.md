# clicky

clicky: highlight text anywhere, and a small bead next to the
cursor offers to translate, reply to, polish or explain it with a local Ollama
model.

This crate is the verified core of the app, written in Verus:

- `src/text.rs` — trimming, substring search, and the std text conversions.
- `src/json.rs` — the `serde_json` calls that read Ollama's JSON.
- `src/model.rs` — endpoints, error messages, the newline-delimited reply
  stream (`LineFramer`) and what each line of a chat or pull reply means.
- `src/reply.rs` — a whole streamed reply read chunk by chunk: the token or
  progress events, then exactly one terminal event.
- `src/watcher.rs` — the selection-gesture tracker run every frame, and the
  verdict on a captured selection.
- `src/selection.rs` — the clipboard poll that waits for a copy to land.
- `src/panel.rs` — the panel's text, blur handling, hotkey and menu items.
- `src/settings.rs` — the settings and their defaults.

`app/` is the Tauri application around it: windows, tray, hotkey, clipboard,
keyboard, mouse and HTTP. `tests/` exercises the library on concrete values.
