# rampipe

Keeps GGUF models resident in memory and serves local clients over a Unix socket. The library in
`src/` holds the rules and is verified with Verus; `app/` is the program around it, which talks to
llama.cpp, to sockets and to files.

## Layout

| Part | What it is about |
| --- | --- |
| `registry`, `memory` | which models are resident, who holds them, whether another one fits |
| `daemon`, `connection` | what to load and evict, what is counted, one connection as a machine |
| `session` | embeddings, device placement, failures to allocate a context |
| `conversation`, `ledger`, `generation`, `turn`, `one_shot` | turns, the book-keeping of a cache, when a reply ends |
| `chat_template`, `conversation_template` | rendering a chat template, and the spans that turns are composed of |
| `tool_probe`, `tool_format` | how a model writes tool calls, and reading them out of what it generates |
| `protocol`, `client`, `model_settings`, `args` | what travels, what answers mean, settings, command lines |
| `scripted`, `transcript` | a daemon that replays a script, and what was said to it |
| `json`, `text` | values and character sequences |
| `call_laws`, `probe_laws`, `residency_laws`, `exchange_laws` | what holds across several of these |

Functions whose names begin with `law_` are proofs of what the library promises as a whole: a model
that is held is never unmapped, the ledger of a conversation stays in step with the cache, a call that
is written in a derived format is read back, a saved conversation goes on where it was.

## What is trusted

`serde_json` and `minijinja` are called through wrappers whose contracts are stated, not proved; each
says in its comment which function it calls. Floating-point numbers are never computed with: where sampling
settings are carried, their type is a parameter.
