# mkworld_tracker

Tracks the race number and the player's running points of a twelve-race
event from a captured game window, and serves them to a browser overlay.

- `src/` is the verified library (Verus): the race state and its cooldown
  rules (`state`), the text rules that read race banners and scoreboard
  lines (`text`, `pattern`, `ocr`, `agents`), the pixel preprocessing of
  frames (`frame`), and the decisions of the capture loop (`capture`).
  Text recognition (`ocrs`, `rten`) and regular expressions (`regex`) are
  called through small trusted wrappers whose contracts are stated in
  their doc comments.
- `app/` is the program around it: window capture, model download, the
  async agent loops and the web server.
- `tests/` runs the library with the real outside crates.
