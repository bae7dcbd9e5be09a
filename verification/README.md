# stow

A terminal chat front end: an intro animation of the logo, then a chat view
with a prompt editor. The logic is a Verus library, proved against its
contracts; the terminal program around it is ordinary Rust.

## Layout

- `src/` — the verified library (`stow`):
  - `keys` — key presses as the library sees them;
  - `text` — character-level string helpers (`str::lines`, `str::trim`, ...);
  - `wrap` — word wrapping through `textwrap` and the realignment of its lines
    with the typed text;
  - `editing` — what a key, a word motion or a line motion does to a text and
    its cursor, with the laws they obey;
  - `tui` — the simple prompt editor, the prompt editor in use
    (`tui::textarea`) and the chat rows and viewport (`tui::layout`);
  - `app` — the chat flow: messages, prompt, scrolling;
  - `input::keymap` — what each key press does to the flow;
  - `intro_anim` — decoding the logo GIF through `gif`, composing its frames
    and turning an image into half-block cells;
  - `phases` — when the splash, the reveal and the chat give way to one
    another.
- `app/` — the program: terminal setup, the event loop, and drawing with
  `ratatui` from the values the library computes.
- `tests/` — tests of the library on concrete values.
