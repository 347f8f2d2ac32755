# nablaskk_core

The engine of an SKK Japanese input method: romaji-to-kana conversion,
readings and okurigana, dictionary lookup with learning, numeric and
program-generated candidates, candidate selection and word registration,
driven by a hierarchical state machine per input session.

## Layout

- `src/` — the engine, verified with Verus. Functions carry
  `requires`/`ensures` contracts. Each state handler's contract gives the
  new state per event; where the outcome rests on what the front end, the
  candidate window or the dictionaries answer, it states what holds for
  every answer. The session's `handle_event` states that the event reaches
  the states and that fixed text reaches the front end; which text a given
  key sequence commits follows from the handlers, not from that contract.
  Laws spanning several calls are public proof functions named `law_*`
  (text buffer, selector and completion cursors, candidate suites and
  line parsing, dictionary files, completion order, the user dictionary,
  numeric keys and placeholders, kana rules, keymaps, full-width latin,
  the EUC-JP round trip).
  - `skkserv` — the dictionary server's replies to its commands.
  - `text`, `jconv` — character sequences, kana/latin tables, EUC-JP codec
    driven by a code table (`EucTable`).
  - `candidate`, `entry`, `numeric` — candidates and their line syntax,
    readings, numeric conversion.
  - `dictionary/*` — file format, system, user, program-generated,
    downloaded and skkserv dictionaries.
  - `backend`, `selector`, `completer`, `editor`, `context`, `machine`,
    `session` — lookup, selection, editing and the session state machine.
  - `trie`, `keymap`, `event`, `config`, `bridge`, `terminal`,
    `calculator` — rules, key bindings, host interfaces, terminal keys and
    the `=expr` tokenizer.
- `tests/` — tests on concrete inputs.
- `app/` — the host side: files, sockets, the clock, the floating-point
  calculator, the terminal client (the program; run as `skkserv` it is the
  dictionary server) and the C ABI.
