# delve_game

The rules of a grid-based first-person dungeon crawler, written in Verus
and proved against their contracts.

- `src/` is the verified library: the software pixel canvas used for
  procedural textures, word wrapping and number formatting for the HUD,
  the inventory cursor and drag-and-drop rules, ramp and layer geometry,
  the trading screen, save slots and timestamps, saved level states, the
  reaction to each step, the level-transition
  state machine and the modal overlays. Laws that span several functions
  (cursor moves undo each other, a replayed wall list is idempotent, a
  ramp crossing taken and reversed returns to the start layer, and so on)
  are public proof functions next to the code they speak of.
- `tests/` runs the library on concrete values.
- `app/` is the Bevy shell around it: input, frame time, file storage and
  the floating-point drawing and lighting work.
