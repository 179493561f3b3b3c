# sampling2api

A bridge that serves the Anthropic Messages API (`POST /v1/messages`) by asking
connected MCP clients to sample (`sampling/createMessage`). Its logic is written
in Verus and proved against its contracts.

## Use

```bash
# one MCP client on standard input and output
sampling2api stdio --listen 127.0.0.1:38080

# MCP clients over Streamable HTTP
sampling2api http --listen 127.0.0.1:38080 --mcp-path /mcp
```

A request with `"stream": true` is answered as a stream of events, any other one
as JSON. Where several clients are connected, the header `x-mcp-session-id`
chooses one. `GET /health` answers `ok`.

## Layout

- `src/` is the verified library.
  - `anthropic`, `sampling`: the data of the two protocols
  - `conversion`, `hint`, `image`: requests to sampling, with the downloads of
    images that are named by address
  - `response`, `streaming`: results to responses, in one piece or as events
  - `registry`, `runtime`, `api`: the connected clients, how a request is served,
    and the errors it is answered with
  - `outcome`: what a conversion comes to
  - `laws`: what holds of all conversions
  - `json`, `text`, `error`: what the rest is made of
- `app/` is the program around it: the command line, HTTP, MCP and JSON.
- `tests/` run the library with the crates that it calls.

What the proofs rest on besides Verus are the contracts of calls into other
crates, each with a comment that says what it claims: `serde_json` values in
`json`, `reqwest` URLs and statuses and `base64` in `image`, the validation of
`rmcp` in `sampling`, and `String::push` in `text`.
