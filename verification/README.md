# korun

A local developer process runner. A daemon on `127.0.0.1:7777` runs commands as
sessions, keeps their recent output in rolling buffers, restarts them when
watched files change, and answers questions about them over HTTP. The command
line talks to the daemon.

## Layout

- `src/` is a library in Verus. It holds every decision of the runner, each
  function with a contract that is proved.
  - `daemon::buffer`, `daemon::session`, `daemon::session_mgr`,
    `daemon::env_map`: the data.
  - `daemon::process`: supervision of a command, one step for each event.
  - `daemon::history`: what holds of a session over its whole life.
  - `daemon::handlers`, `daemon::error`: answers to requests.
  - `daemon::watcher`: which changes of files concern a session.
  - `cli`: what the command line asks for, and what it makes of the answers.
  - `clock`, `ids`, `text`: points in time, identifiers, texts.
- `app/` is the program around the library: processes, signals, files, sockets.
- `tests/` runs the library on concrete values.

## What is taken on trust

The library calls `chrono` for the clock and for the text of a point in time,
`uuid` for new identifiers and their text, and `serde_json` for JSON strings.
Each call stands behind a small function whose doc comment says what is claimed
of it. Everything else in `src/` is proved.

Functions named `law_...` state what the contracts amount to together.
