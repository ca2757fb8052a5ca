# Keyboard macro backend

The backend of a keyboard macro application: macros in collections, each with a trigger (a key, a
combination of up to four keys, or a mouse button) and a sequence of actions.

- `src/` is the verified decision core. It computes on plain values: the lookup table of the
  triggers (`lookup`), which macros a press fires (`matching`), the steps of a macro (`steps`), the
  macros that repeat while they are held (`onhold`, with their identifiers in `macro_id`), the keys
  that are down (`keys`), the state of the application (`backend`), and the order of work of the
  thread that sends events (`sender`).
- `app/` runs it: device grabbing, async tasks, files.
- `tests/` exercises the core through its public functions.

Keys are told apart by numbers; their HID codes come from a table. Actions of the mouse, system and
light plugins are carried as handles, and tasks of held macros as numbers.
