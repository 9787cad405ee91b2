# rc_voting

The core of a ranked-choice voting service, written in Verus.

- `src/` is the verified library: configuration lookup (`env`), the text
  encodings of stored password hashes (`encoding`), password hashing, checking
  and login decisions (`user_data`), editing a voter's ranked ballot
  (`ballot`), session expiry and cookies (`session`), election page paths
  (`election`) and the GraphQL operations (`graphql`).
- `app/` is the HTTP server around it: axum routes, the diesel/SQLite
  database, the juniper GraphQL schema and cookies.
- `tests/` exercise the library.
