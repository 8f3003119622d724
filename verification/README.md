# mcp-server-bridge

A bridge that exposes a stdio MCP server (by default `chrome-devtools-mcp`,
started with `docker exec -i`) over HTTP and Server-Sent Events.

`GET /mcp` starts a session and streams the server's output; its first event,
`endpoint`, gives the URL (`http://HOST/mcp?session_id=UUID`) to which the
client posts its JSON-RPC messages with `POST /mcp`. `GET /health` answers
`{"status":"ok"}`.

## Layout

- `src/` — the verified library (Verus):
  - `text.rs`: characters, Unicode whitespace, splitting;
  - `url.rs`: rewriting the host of a `--browser-url` URL to an IP address;
  - `config.rs`: command-line settings, the MCP server's arguments, the
    `docker exec` command lines;
  - `ids.rs`: session identifiers and their text;
  - `request.rs`: which session a `POST /mcp` names, and the answer to it;
  - `events.rs`: what the writer, reader and SSE tasks of a session do.
- `app/` — the program around it: the axum server, the session store, the
  tokio tasks, process spawning and DNS lookups.
- `tests/` — tests of the library.
