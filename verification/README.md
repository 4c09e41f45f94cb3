# serpula

Scheduled [restic](https://restic.net) backups for macOS, driven by launchd, with failure
notifications through [ntfy](https://ntfy.sh). What the program decides and computes is a library
verified with [Verus](https://github.com/verus-lang/verus); reading the environment, running
commands, files and the network are ordinary Rust around it.

- `src/` is the verified library.
  - `app`: the arguments of restic, and the steps of a run behind a lock
  - `cli`: the command line
  - `config`: the settings of a run, and the host name
  - `env_map`, `env_file`: the entries of the secrets file, and its format
  - `secrets`: the secrets file, restic's environment, and the ntfy topic
  - `label`, `xml`, `launchd`, `install`: domain labels, XML text, and the launchd agents
  - `notify`, `restic`: notifications, and what a run of restic came to
  - `text`, `path`: strings and paths
- `tests/` holds the tests of the library.
- `app/` is the program.

Every function of the library states in its contract what it returns. The `law_` functions state
what holds across functions: for instance, that a secrets file is read back as it was written
exactly where the format can hold its entries (`law_written_secrets_are_read_back`), that every
sanitized name is a domain label (`law_result_is_domain_label`), and that escaped XML text can be
unescaped (`law_unescape_undoes_escape`).
