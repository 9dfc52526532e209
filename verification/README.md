# onedm

The engine and queue of a desktop download manager, verified with Verus.

- `src/` is the library. What it computes and decides is stated in `requires`
  and `ensures` and proved: range plans, playlists and manifests, templates,
  keys and initialization vectors, the download queue, stream detection,
  clipboard and page scanning. Calls into other crates (`url`, `quick-xml`,
  `m3u8-rs`, `dom_query`, `hex`, `aes`/`cbc`, `reqwest`'s header types,
  `serde_json`) go through small trusted functions whose doc comments say what
  is taken for granted.
- `app/` is the Tauri shell: windows, requests, files, timers, ffmpeg and
  torrents. It performs what the library asks for and hands back what happened.
- `tests/` runs the library on concrete values.

Streams under DRM can be played in the embedded browser but are never
downloaded: manifests that mark protection, and playlists whose segments use
anything but AES-128, are refused.
