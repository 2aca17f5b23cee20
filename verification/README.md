# IronVein

A small online world. Players appear as coloured balls on a map, click to walk,
and see each other move.

The rules of the game are a library verified with [Verus](https://github.com/verus-lang/verus):

- `src/shared.rs`: identifiers, positions and the messages between server and client;
- `src/wire.rs`: messages as bytes, written and read by `bincode`;
- `src/login.rs`: the name of a new client, and its row in the players table;
- `src/clients.rs`: the connected clients, and who hears a broadcast;
- `src/session.rs`: one client's connection, from login to its end;
- `src/world.rs`: the players on the server, and what commands and messages do to them;
- `src/client.rs`: what a client shows of the world, and the clicks that it sends;
- `src/canvas.rs`: the players as balls on a canvas;
- `src/laws.rs`: what holds of the game as a whole.

A coordinate is a single precision number. The library carries it as its bit
pattern; adding, subtracting and scaling are left to the caller.

`app/` holds the programs: the server (`axum`, `sqlx`, the game loop of `bevy`), a
client, and a page with a canvas. Start it with `client` or `canvas` for one of the
latter two. The server takes the database from `DATABASE_URL` and expects this table:

```sql
CREATE TABLE players (
    id BIGSERIAL PRIMARY KEY,
    username VARCHAR(32) UNIQUE NOT NULL,
    password_hash TEXT NOT NULL,
    last_position_x REAL NOT NULL DEFAULT 0.0,
    last_position_y REAL NOT NULL DEFAULT 0.0,
    created_at TIMESTAMPTZ NOT NULL DEFAULT NOW(),
    last_login_at TIMESTAMPTZ
);
```
