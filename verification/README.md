# QuoDex

QuoDex is a small desktop meter. It shows how much of a Codex or ZCode quota is left, and whether
the TomatoCloud route works.

The crate is split in two.

`src/` is the library `quodex`, written in Verus: its functions have contracts, and the contracts
are proved, but for those at the border that are named below. It decides and computes; it does no
I/O.

| modules | what they hold |
| --- | --- |
| `capacity`, `app_server`, `conversation`, `codex_install` | the Codex quota: the command that serves it, the conversation with it, and the reading of its answer |
| `tomato_cloud`, `process_output` | the route: what helper commands print, and the check that goes through four stages |
| `zcode_plan`, `zcode_exchange`, `zcode_quota`, `zcode_balance`, `zcode_service` | the ZCode quota: the plan to ask, the request to send, and the reading of the answer |
| `preferences`, `desktop` | what the user chose, and what the desktop shell decides |
| `double`, `percent` | IEEE 754 double precision numbers by their bit patterns, with correctly rounded arithmetic |
| `text`, `ordered`, `environment`, `paths`, `json`, `diagnostic` | texts, ordered entries, variables, paths, JSON values, and failures |

Proof functions named `law_...` state what holds of several functions together.

What is believed without proof is the contracts of the wrappers in `json`, where `serde_json` is
called, and one specification of `String::push` in `text`.

`app/` is ordinary Rust around the library: environment variables, files, processes, JSON
decoding with `serde`, and the window and tray with `tauri`. Numbers cross the border as their
bits (`f64::to_bits`, `f64::from_bits`).

`tests/` runs the library on concrete values, and holds its numbers and texts against those of the
standard library.
