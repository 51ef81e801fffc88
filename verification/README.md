# playpen

The logic of the playpen coding agent, verified with Verus: what its tools reply, how a
model's streamed response becomes session events, how a session's events become the chat
history sent to the model, the tool loop's decisions, the configuration merge, and the
agent profiles and skills.

## Layout

- `src/` — the verified library. Each public function states its result in `ensures`
  over spec functions and views; laws that relate several functions are public proof
  functions named `law_*`.
  - `json`, `text`, `path`, `sort`, `strmap`: plain data and text.
  - `content`, `event`: content blocks and session events.
  - `stream`: the stream converter (chunks → events) and its whole-stream laws.
  - `convert`: events → chat messages.
  - `runner`, `tool_loop`, `subagent`: the turn, the tool loop as a state machine, the
    sub-agent's result.
  - `tools`, `workspace`, `core_tools`: the tools' checks and replies.
  - `model`, `presets`, `config`, `profile`, `client`, `files`: configuration, profiles,
    the DeepSeek client's request shaping, image uploads.
- `tests/` — tests on concrete values.
- `app/` — the program around the library: files, the network, serde forms of the
  library's types.

`src/` calls a few outside crates (glob, grep, htmlescape, sha2, base64, mime_guess) and some
std functions through small trusted wrappers, each with a doc comment saying what its
contract claims.
