# explainer

A chat bot that looks words up in a dictionary service and answers with their
definitions and recordings, written as a verified Verus library (`src/`) and a
thin program around it (`app/`).

- `src/text.rs` — UTF-8 byte widths and byte prefixes of character sequences,
  decimal rendering of integers, joining of strings.
- `src/dictionary.rs` — the dictionary reply, the word entry that the bot shows,
  the rules that place a recording's link, and how a lookup reply is answered.
- `src/json.rs` — reading a list of suggestions from JSON text.
- `src/replies.rs` — what the bot answers after a lookup, in a chat and to an
  inline query.
- `src/botlib/` — the bot client: handlers by kind of update, routing of updates,
  inline results and keyboards, and the requests sent to the chat service.
- `app/` — network access, JSON encoding of the library's values, threads and
  the program's `main`.
