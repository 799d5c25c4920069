# neukgu

The logic of neukgu's desktop front end, written in Verus. The functions in
`src/` carry contracts that Verus proves, and the properties the front end
relies on are stated as lemmas next to the code they are about. The
exceptions are the small wrappers around outside crates and std (marked
`#[verifier::external_body]`): their contracts are believed, not proved.

## Layout

- `src/`: the verified library.
  - `text`, `hexdump`: character widths, line splitting, UTF-8 lengths, hex dumps.
  - `calendar`: civil dates, weekdays and the month grid of the calendar.
  - `git`: parsing `git diff` and `git log` output, the loader of a
    repository's history and the git panel's state.
  - `worker`, `glob`: background jobs, how their answers are routed back to
    the tab that asked, ripgrep output, file text previews and the glob walk.
  - `config`, `api_key`, `model_store`, `crypt`: project and chat settings,
    the keys the models need, and the encrypted key store.
  - `file_change`: word-level diff rows of a unified diff.
  - `browser`, `launcher`, `preview`, `file_selector`, `file_editor`,
    `scratch_pad`, `tabs`, `index`, `chat`, `working_dir`, `popup`, `keys`,
    `zoom`: the state, the key bindings and the decisions of the views.
- `tests/`: tests run against the compiled library with the real outside
  crates.
- `app/`: the ordinary Rust around the library: threads, processes, files,
  and the serde copies of the library's types.

Outside crates are reached only through those trusted wrappers; the doc
comment of each names the function it calls and says what its contract
claims of it.
