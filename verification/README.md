# lazydot

A dotfile manager: it keeps configuration files in a *dotfolder* and replaces each
managed path in the home directory by a symbolic link to its copy there.

The crate is a Verus library (`src/`) with a thin command-line program around it
(`app/`).

- `src/path.rs` — a model of Unix path text: pieces between separators, components,
  `join`, `starts_with`, `strip_prefix` and `with_extension("bak")`, with the lemmas
  about them.
- `src/utils.rs` — expanding user paths, checking that a path lies in the home
  directory (`check_path`), locating a path's copy in the dotfolder, and the decisions
  behind deleting and copying files.
- `src/config.rs` — the configuration, adding and removing managed paths, validation.
- `src/config_file.rs` — writing the configuration into its TOML file with `toml_edit`.
- `src/dot_manager.rs` — what `status`, `sync`, `disable-link` and `check` decide: the
  file operations to run on each path, the handling of duplicates, the reported state.
- `app/main.rs` — argument parsing, file system and terminal work, performing what the
  library decides.

What the process environment and the disk say (the home directory, the working
directory, whether a path exists) is handed to the library as plain values.
