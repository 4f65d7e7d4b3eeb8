# bwaa

A Discord chat bot that answers with a generative language model, remembers facts of the
server, reacts to messages and runs JavaScript in a sandbox.

The library in `src/` holds the bot's logic, each function with a contract proved by
Verus:

- `text`: trimming, cutting text into message-sized pieces, joining, replacing, decimal ids.
- `json`, `schema`: JSON values and the function-parameter schemas read from them.
- `model`, `request`: conversation turns, requests and responses, the request builder.
- `history`: preparing a conversation before it is sent (notes for old tool calls,
  merged turns, no leading model turn).
- `cache`: the recent turns of each channel, bounded per channel.
- `tools`, `registry`: the tools offered to the model and what their results come to.
- `engine`: the rounds of one agent turn and its final reply.
- `handler`: the decisions of one chat turn (memories, retry, fallback, grouped reactions).
- `memory`, `media`, `prompt`, `reactions`, `sandbox`, `config`: search queries, attachments,
  incoming messages, emoji kinds, the sandbox's scripts and the system instruction.

`app/` is the program around it: the gateway loop, the HTTP and gRPC clients, SQLite,
the JavaScript runtime, and the conversions to and from the service's messages.
