# coding-agent

A coding agent that runs in a terminal. It talks to any OpenAI-compatible API, edits
files, runs shell commands, and takes tools from Lua plugins.

The library under `src/` is written in Verus: its functions carry contracts, and Verus
proves them. It does no input or output of its own. The program under `app/` does that,
and asks the library what to do.

## Layout

- `text`, `number`, `json`: strings as sequences of characters, decimal numbers, and the
  fields of JSON values
- `api`, `stream`: the data of the chat protocol, and the way from the bytes of a
  streamed response to its events
- `anchor`, `listing`, `edit`: the `line:tag` anchors of files, and edits by them
- `tools`, `plugins`: what the built-in tools and the plugins offer, what a call comes
  to, and what is answered
- `agent`, `config`: the agent loop as a session, and its settings
- `ngram`: interning of n-grams in an arena
- `conversation`, `ui`, `ui::render`: what the interface shows, how keys and events
  change it, and the styled lines that it is drawn with
- `tokens`, `wrap`, `base64`, `image`: what the interface computes

The modules `stream_laws`, `edit_laws`, `agent_laws` and `ui_laws` state what holds over
several operations: that an edit by a stale anchor is refused, that every tool call is
answered once, that an answer is kept as it was shown.

What the library takes from elsewhere without proof is marked
`#[verifier::external_body]` or `assume_specification`, with a comment that says what is
claimed: parsing and printing of `serde_json`, the arena of `bumpalo`, and the UTF-8
decoding of the standard library.
