# is-tree

A command-line tool that detects and classifies Git and Jujutsu working
directories (`git`, `jj`, `worktree-git`, `worktree-jj`, `none`) and reports
columns about them, with a verified core library.

## Layout

- `src/` — the library, written in Verus. Its functions carry contracts
  that Verus proves, except seven small trusted wrappers (`external_body`)
  around `std::path`, `String::push`, `String::from_utf8_lossy`, `chrono`
  and `serde_json`, whose contracts are believed as stated.
  - `repo`, `git`, `jj` — classification from the `.jj`/`.git` markers of a
    directory; the sync-status report of a Jujutsu workspace.
  - `workparent`, `variant`, `paths` — the repository a worktree points at,
    and the variant suffix of its directory name.
  - `ahead`, `date`, `beads` — the command lines of the `jj`, `git` and
    `bd` queries, and step functions that decide which query runs next and
    what its output means (ahead count, commit and change dates, beads
    tracker metadata).
  - `plugin`, `registry` — column and argument catalogs, plugin
    registration, requested-column resolution, plugin job selection and the
    merge of row patches with column ownership.
  - `render` — format templates, placeholders, text and JSON row shapes,
    directory selection.
  - `text`, `process` — character-level string models and command output.
  - `laws` — properties of the library as a whole (registry invariants,
    ownership of merged cells, template round trip, unique argument ids, …).
- `tests/` — tests on concrete values, run against the compiled library.
- `app/` — the executable: argument parsing with `clap`, file-system access,
  running `jj`, `git` and `bd`, and printing text or JSON.

## Usage

```bash
is-tree ~/src/project            # status and directory
is-tree --all --format all       # every column for every subdirectory
is-tree --all --jj --json        # add the Jujutsu columns, print JSON
is-tree --all --header --separator " | "
```
