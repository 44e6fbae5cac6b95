# rustup

What a toolchain installer decides, with proofs: where its homes are, how it keeps
shell profiles, how it updates itself, and how it unpacks component archives.

`src/` is the verified library. It computes on plain values and leaves files,
processes and threads to its callers: where an operation alternates between decisions
and access to the outside, it is a function from what the last access brought to the
access that comes next.

| module | what it holds |
|---|---|
| `path` | Unix paths as byte strings |
| `text` | whole lines in a text |
| `home` | homes by category, and the home of the installed programs |
| `rcfiles`, `rcfile_laws` | upkeep of shell profiles, and what it comes to |
| `self_update` | the check for `sudo`, environment scripts, updater and replacement |
| `archive` | decoding archives and placing their members |
| `pool`, `pool_laws` | bounded workers for disk operations, and what holds of every run |
| `unpack` | the request to unpack an archive, and the producer that serves it |

Decoders and the tar reader come from `flate2`, `xz2`, `zstd` and `tar`. What they
return, up to an error where there is one, is named, not described; the functions that
go on from there take it as an argument.

`app/` is the ordinary Rust around the library, `tests/` runs the library.
