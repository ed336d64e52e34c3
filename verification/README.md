# flash

Watches a Rust workspace, rebuilds it when its sources change, and uploads the
rebuilt executables to the observers listed in the workspace's `flash.json`;
a small HTTP server lists and serves the executables.

- `src/` is the verified library (Verus): the catalogue of built executables
  (`state`), which executables each observer receives (`observers_handle`),
  the watcher's ignore rules and debounce (`watch`), the upload endpoints
  (`send_executable`), the download server's replies (`server`), and the
  recognition of build artifacts and of the configuration file.
- `app/` is the program around it: argument parsing, reading the workspace,
  running `cargo build`, the file watcher, HTTP uploads and the axum server.
- `tests/` runs the library on concrete values.
