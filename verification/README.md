# xcode_tools

A build server (BSP) for SourceKit-LSP over Xcode projects, and the debug
adapter glue of a Zed extension (`xcode-debug`, lldb-dap), with the logic
verified by Verus.

## Layout

- `src/` — the verified library.
  - `text`, `sort`, `path`, `uri`, `json`: strings, a lexicographic order,
    Unix path components, `file://` URIs, and a JSON value model (parsing and
    printing go through `serde_json`).
  - `protocol`: LSP framing (`Content-Length`), JSON-RPC envelopes, and the
    dispatch of each message to a reply, an action, or silence.
  - `build_settings`, `pbxproj`, `workspace`: `xcodebuild` output,
    `project.pbxproj` (as `plutil` JSON), `.xcworkspace` members and
    `buildServer.json`.
  - `synth`: clang and swiftc arguments for a file of a target.
  - `state`: the session — projects, targets, file routing, watched files,
    per-target caches.
  - `dap`: debug configurations, their validation, the lldb-dap command.
- `app/` — the program around it: stdio, threads, processes, the file
  system, and the Zed trait impl (`extension.rs`).
- `tests/` — tests of the library.
