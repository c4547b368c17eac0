# dune

The rules and state of a networked Dune board game, verified with Verus.

- `src/` is the library. `state`, `rules` and `reduce` hold the game state, the
  specification of what each game event does to it, and the verified code that
  applies and validates events. `server` holds the server's turn logic, proved to
  keep the clients' copies of the state in step with its own. `laws` states what
  holds of every event. `components`, `data`, `object`, `collections`, `phase`,
  `stack`, `network` and `util` hold the game vocabulary and the containers the
  rest is built on.
- `tests/` runs the library on concrete games.
- `app/` is a headless server and client around the library: networking with
  renet, the wire format with serde and bincode, the rule tables read from RON.
