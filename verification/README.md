# beads

The core of an issue tracker that keeps a YouTrack project as its mirror:
issues and their vocabulary, search and sort specifications, and the engine
that pairs local issues ("beads") with issues of the mirror, works out what
differs, and pushes or pulls it. Everything in `src/` is verified with Verus.

## Layout

- `src/model/`: issues, statuses, types, priorities, dependencies; the scope of
  a search and the order of a listing.
- `src/remote/`: the mirror. `config` and `http` say where it is and how
  requests are judged; `reconcile`, `diff`, `link_diff`, `comments` and
  `tombstone` compare the two sides; `plan` puts the differences together, and
  `rendering` says what its printed form shows;
  `adopt` takes issues over; `execute` pushes and pulls; `youtrack` holds what
  is particular to YouTrack, the set-up of a project among it.
- `src/text.rs`, `src/order.rs`, `src/json.rs`, `src/time.rs`: what the rest is
  built on.
- `tests/`: what the library does, on given values.
- `app/`: files, sockets, the environment and the terminal.

## Runs

Nothing in the library sends a request. A run is a function of the replies that
it has had (`src/remote/talk.rs`): it comes either to its end or to its next
request. `app/run.rs` sends that request, adds the reply, stores what the step
reports, and works the run out again. So the contracts speak of whole runs, for
every list of replies, and `src/remote/execute/laws.rs` states what holds of all
of them: planning only reads, an issue whose bead is known is never created a
second time, and no run deletes an issue.

## What is trusted

A few functions of the standard library, of `chrono`, `indexmap` and
`serde_json`. Each is declared with its contract, and with a comment that says
what is taken on trust, in `src/text.rs`, `src/time.rs`, `src/json.rs` and
`src/remote/config.rs`.
