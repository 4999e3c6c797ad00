# poker_server

The game server of a two-seat poker table, with its logic verified by Verus.

- `src/` is the verified library:
  - `service.rs`: the process-wide game id source and the table of games
    (create, list, look up, seat players,
    count spectators, leave) with its invariant and laws;
  - `session.rs`: guest profiles by session token, the session cookie and its
    parsing;
  - `api.rs`: what the HTTP endpoints accept and refuse;
  - `connection.rs`: the life of one game websocket as a state machine;
  - `models.rs`: the game records and their models;
  - `text.rs`: trimming, ASCII case folding and decimal notation;
  - `log.rs`: timestamps of the activity log, rendered by chrono.
- `app/` is the server program: axum routes, the websocket loop that performs
  what `connection.rs` decides, PostgreSQL start-up check and logging.
- `tests/` runs the library on concrete cases.

The server reads `DATABASE_URL` (and `.env` through dotenvy) and
`COOKIE_SECURE`; guests, sessions and games live in process memory only.
