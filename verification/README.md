# ssbu_twitch_integration

A Twitch chat votes on effects that then hit the fighters of a Super Smash
Bros. Ultimate match, or on which player receives a randomly drawn effect.
The library holds the decisions, verified with Verus; `app/` is the Switch
plugin around it (game hooks, the chat connection, the configuration file).

Layout of `src/`:

- `config.rs` – the settings and their defaults.
- `twitch.rs` – what a line from the chat server means, and the login lines.
- `vote_text.rs` – reading a chat message as a vote number.
- `voting.rs` – the vote state: counting, one vote per chatter and period,
  the end of a period, the winner among the highest counts, drawing the
  offered effects.
- `sys_line.rs` – a match starting or ending; developer shortcuts.
- `effects/` – the effects and the per-frame lifecycle of an effect on a
  fighter.
- `hooks.rs` – which game values the active effects change.
- `laws.rs` – properties spanning several operations.
- `utils.rs` – match-clock arithmetic, UTF-8 offsets, character substrings.

Randomness, the match clock and the game state come from the game and are
passed in as arguments; the plugin draws them and hands them over.
