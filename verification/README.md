# bridge_table_service

A realtime table manager for bridge: server-authoritative bidding and play,
class sessions run by a teacher, and bot seats. The rules are a library whose
behaviour is stated in `requires` / `ensures` contracts and proved by Verus; the
program around it is ordinary Rust.

## Layout

- `src/` is the verified library.
  - `engine` — auction and play legality, contracts, trick winners.
  - `table` — a table as a fold over its action log; undo truncates the log.
  - `rooms`, `seating`, `sessions`, `registry` — seats and takeover, seat
    policies, sessions with their lobby, rounds and roster, and who is live.
  - `bots` — whose turn is a bot's, what its backends are asked, and what is
    done with their answers.
  - `routes` — what each frame and each admin request does.
  - `auth`, `config`, `dealer`, `deals`, `boards` — tickets, configuration,
    script deals, shuffling and rotation, board sets.
  - `cards`, `text`, `directory`, `events`, `actions` — what the others are
    made of.
- `app/` — HTTP, WebSockets, JSON, the database and the bots' HTTP calls.
- `tests/` — the library on concrete values.

Functions named `law_…` state what holds of the library as a whole: what an undo
takes back, that a table is never stuck, that a bot's turn always comes off, that
a reconnect finds its seat, that a refused frame changes nothing.

## What is trusted

The library calls `base64`, `hmac` with `sha2`, `chrono` and `rand`, and a few
functions of `std`, through small items whose contracts are not proved. Each says
in its comment what it claims of the outside function.
