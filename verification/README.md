# deepseek_chess

A desktop chess game in which a language model (DeepSeek) plays against a
person. The logic is a Verus-verified library; the desktop shell around it
is ordinary Rust.

- `src/` — the verified library
  - `text.rs`: character-level text operations (trimming, lines, search,
    integers) and the few standard-library calls they rest on
  - `chess_engine.rs`: the game record over FEN text (held as a `Position`,
    whose text is checked readable), move notation, free captures, replaying
    saved moves; positions and moves come from the
    `chess` crate through small trusted wrappers
  - `move_parser.rs`: reading the move and its score from a reply
  - `deepseek.rs`: the request body, picks read from streamed text, and the
    streamed-reply state machine (event lines, `<LMTHINK>` pseudo-reasoning)
  - `prompt.rs`: the system and user messages
  - `game_state.rs`, `persistence.rs`, `commands.rs`: settings, what the
    window is shown, the saved state, and every decision the commands take
- `tests/` — tests run against the compiled library
- `app/` — the desktop shell: shared state, window commands, HTTP streaming,
  the save file, JSON copies of the library's types
