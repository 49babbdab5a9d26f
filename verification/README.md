# wordsling

The text-processing core of a dictation relay: a phone keyboard streams text
over TCP, and the desktop side turns the stream into edits of the focused
window.

`src/` is the verified library (Verus):

- `tcp_server` — bytes read from the socket become UTF-8 text chunks; a
  character cut between reads waits for the rest of its bytes, so a valid
  text read in any number of packets comes out whole, in non-empty pieces.
- `lexer` — a streaming lexer: words, whitespace, punctuation, erase
  commands `[n]` and stabilization marks `*`; word text is lowercased
  character by character, so however the input is cut into chunks the
  lexemes it yields, word text spelled out, are the same.
- `text_processor` — the first processor: a pass-through step and a surgical
  table whose erasures never reach behind the last stabilization.
- `frankenstein_laboratory` — the processor with substitutions: a dictionary
  with prefix-aware lookup, supplementary actions with rollbacks, and the
  surgical table that applies key phrases eagerly and undoes them when a
  longer key takes over; `table_model` states what the table does and
  proves when the franken board keeps mirroring the screen.
- `screen_writer`, `screen_typer` — what to press: clipboard pastes with a
  cooldown and a clipboard session, or Unicode typing.
- `pipeline` — the stages run one after the other on a finite input.
- `conf_file`, `substitution_toml` — the configuration values.

`app/` holds the program around it: threads and channels, sockets, files,
the clipboard and the keyboard.
