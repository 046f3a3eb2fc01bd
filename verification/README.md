# foton

A font manager for Windows that installs, activates, deactivates, updates,
repairs and uninstalls font packages for the current user. Packages are
described by TOML manifests and offered by registries.

The library under `src/` holds the logic, each function with a contract
that Verus proves:

- `package/`: package names, versions, IDs and specifiers, the manifest
  format, the rules that pick font files out of a download, and the
  directories of an installed package;
- `registry.rs`: the configured registries and their indexes;
- `db.rs`, `db_file.rs` and `simulate.rs`: the package database, its state
  transitions, its TOML document (read and written, with a proof that what
  is written reads back), and the simulated copy that planning runs against;
- `engine/`: resolving requests into targets, planning the steps, the
  order in which steps run and what each outcome records, staging a
  download into font files, and the report of a plan.

`app/` is the command around the library: argument parsing, the files in
the data directory, downloads, archive reading and writing the font files.
