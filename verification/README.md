# chat_server

A line-based chat server, its clients and its database migrations, with the
logic verified by Verus.

- `src/` is the verified library:
  - `protocol`: how a client line `bob, alice: hello` names its recipients
    and its message, line framing, and the texts the server sends and logs;
  - `broker`: the set of connected peers and the actions taken for each
    event (a peer joins, sends a line, or its writer finishes), with the
    routing laws;
  - `registry`: the users known from the database;
  - `chat_ui` and `layout`: the server's three log panes, which cut of the
    screen shows which pane, and the cuts handed to tui's layout solver,
    whose pieces are stated to be that cut (in order, spanning the area,
    taking their shares), each edge to within one cell;
  - `migration`: which files are SQL migrations;
  - `text`: characters, Unicode whitespace, trimming, splitting, decimals.
- `app/` holds the programs: `server` (default), `client`, `dummy` and
  `migrate`, which do the networking, terminal drawing and database work.
- `tests/` runs the library on concrete inputs.
