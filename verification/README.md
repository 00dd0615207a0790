# aide

A local-first command-line assistant: it chats with a local language model,
learns a small profile of its user, keeps conversations in SQLite, renders
replies with colour themes and syntax highlighting, and saves images that
replies carry.

The crate is written in Verus. `src/` is the verified library: the
assistant's own decisions (what a typed line asks for, how a prompt editor
reacts to a key, what a message teaches about its user, which models fit the
machine, how a reply is cut into prose and code) are functions with contracts,
proved against a mathematical model of their inputs and outputs. Where the
work itself is done by another crate (syntect's highlighting, base64
decoding, crossterm's colours, the system clock), the library calls it
through a few trusted declarations whose contracts are believed, not proved,
and states its own results over names for what those calls return. `app/` is
the program around it: terminal input and output, files, the database,
downloads, markdown rendering and the model backends; it hands the library
plain values and acts on what comes back.

Library modules:

- `text` — character-level text operations (trim, find, split, join, digits).
- `input`, `prompt` — the two chat prompt editors as state machines.
- `session` — what a typed line or command asks for, model choice, the
  clean-up plan, history entries, prompt additions.
- `stream` — separating prose from fenced code while a reply streams in.
- `ui`, `highlight` — cutting a reply into prose and code; syntax
  highlighting through syntect.
- `chat` — image blocks in replies and their decoding.
- `profile` — what a message teaches about the user, and the system prompt.
- `memory` — calendar dates, timestamps and session identifiers.
- `models`, `system`, `generation` — the model catalogue and prompt formats,
  hardware compatibility, and when token generation stops.
- `theme` — built-in and user themes, colour parsing.
