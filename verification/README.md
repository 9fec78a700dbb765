# moltis_feishu

The Feishu channel of Moltis, its gateway and its Chinese web tools, as a Verus library with
contracts, and the application code around it.

## Layout

- `src/` is the verified library.
  - `feishu/`: the account settings, the HTTP interface, the WebSocket frames and the pieces of
    events that they carry, the connection loop, what becomes of a message, what is sent, and the
    accounts with their probes.
  - `gateway/`: the commands of a chat, the way of a message to the model, sessions and their
    archive, hand-offs between agents, recordings and places, pairing pictures, and the store for attachments.
  - `tools/`: `web_cn_search` over Metaso, Bocha, Anspire and Jina with its ranking, and
    `web_read` with its guard against private addresses, its cache and its chain of backends.
  - `text`, `json`, `encoding`, `wire`, `web_url`, `assoc`, `channel`, `clock`: what all of them
    stand on.
- `tests/` runs the library, with the outside crates linked.
- `app/` performs what the library decides: network, files, tables, tasks, and the copies of types
  that are read and written with serde.

## How it works

Whatever needs the outside world in its middle is a conversation. A function of the library takes
the request and the answers so far and says what is to be done next; its contract gives that
action for every request and every list of answers. The application performs the action, adds the
answer and asks again.

Outside crates that compute on plain values are called from the library: `base64`, `ipnet`, `qrcode`,
`serde_json`, `sha2`, `url`, `urlencoding` and `uuid`. The functions that make the calls say in
their documentation what is taken on trust.

Properties that span several functions are public proof functions whose names start with `law_`.
