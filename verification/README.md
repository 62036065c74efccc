# hexsnake

The rules of a snake game on a board of hexagonal cells, as a library
verified with Verus, and a thin layer around it for the platform.

- `src/` is the verified library. Every function states what it does in its
  `requires`/`ensures`, and the properties that tie several functions together
  (wrapping back where one came from, reading back what was stored, the path
  finder finding an apple exactly when one can be reached, and so on) are
  proof functions named `lemma_*`.
- `app/` holds what the library leaves to the platform: keyboard input through
  macroquad, the platform a key is labelled for, and the floating-point
  geometry of drawing.
- `tests/` runs the library on concrete values.

The modules:

| module        | what it holds                                                       |
|---------------|---------------------------------------------------------------------|
| `hex`         | directions, cells, steps, wrapping around the board, neighborhoods   |
| `border_hints`| the sides of the board that wrap, and where to                      |
| `portal`      | edges that teleport or otherwise act on a snake, laid out per board  |
| `apple_spawn` | free cells, sorted occupied cells, apple spawns, where new snakes start |
| `collisions`  | which heads ran into what, and what comes of it                     |
| `guidance`    | the autopilot's path to an apple: the cheapest its search keeps      |
| `distance_grid`| how many steps each cell is from the player's head                 |
| `fps_control` | frame pacing, play/pause/game over, frame-rate measurement           |
| `prefs`       | the preferences and their stored `key=value` form                   |
| `menu`        | the options menu's toggles and labels, and the menus' screens        |
| `controls_menu`| the players and keys screens' state                                |
| `options_menu`| the options menu's buttons, line by line, and what each stands for   |
| `game`        | what a running game does with a key, and after an option changed     |
| `advance`     | a step of a game: lives, crashes, cuts and apples eaten              |
| `game_mode`   | the rules a game is played by                                       |
| `message`     | which message a game shows, and where                               |
| `key`         | keys, their stored form and labels, the players' key bindings       |
| `snake_control_creator` | recording a snake's moves by steering it                 |
| `stats`       | the statistics shown on request                                     |
| `text`        | the pieces of `str` the stored forms rest on, with specifications   |
| `random`      | the source of chance                                                |
