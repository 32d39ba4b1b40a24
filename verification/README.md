# discord-issue-bot

Turns a Discord thread into a well-formed GitHub issue. Someone writes `@issue`
in a thread; the bot reads it, asks a model for a title, labels and a summary,
and posts the draft as a card. Nothing reaches GitHub until the person who asked
presses **Create issue**.

## Layout

- `src/` is the library: everything the bot decides and every text it writes,
  proved with Verus against contracts over mathematical sequences and maps.
  - `text`, `number`, `json`, `http`: the vocabulary.
  - `config`: the environment, the limits, and which repository a server files
    into.
  - `transcript`: a thread as bounded, defanged text, for the model and for the
    issue.
  - `llm`: what the model is told, and what is kept of its answer.
  - `issue`: the body of the issue.
  - `card`: the confirmation card.
  - `github`: requests to GitHub, its answers, and the memory of labels.
  - `reader`: which messages of a thread are read, and what is kept of them.
  - `discord`: the state, and what each event does to it.
  - `laws`: what the library promises as a whole, as theorems.
- `app/` is the program around it: it talks to Discord, GitHub and the model, and
  carries out what the library decides.
- `tests/` runs the library.

## What is trusted

Five small functions call code that is not verified here, and say in their
contracts what is believed of it: reading JSON with `serde_json` (two functions
in `json`), writing out a status code with `reqwest` (`http`), making small
letters with the standard library (`discord`), and making the keyed hasher that
a nonce is drawn from (`transcript`), of which nothing is believed. Nor is
anything of `RandomState::new`, which makes the keys. `text` states what
`String::push` does.
