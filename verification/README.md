# spacerl

The core of a space roguelike, verified with Verus: you walk around a ship, fly
it between the bodies of a sector, land it on a planet's surface and fight what
lives there.

## Layout

- `src/` is the library, every function with a contract that Verus proves:
  - `v2i`, `recti`, `grid`: integer vectors, rectangles, flat grids, placed
    grids, sparse grids and stacks of layered grids, with their coordinate
    arithmetic and laws (index round trips, reads after writes, which layer
    shows at a cell).
  - `grid_string`, `loader`, `cfg`: text maps read into grids of tiles and the
    objects they place, and grids written back as text.
  - `area`, `visibility`, `models`, `team`, `health`, `combat`, `actions`,
    `ai`, `mob`, `ship`, `steering`, `input`, `game_log`: the rules of the
    game, each as a function from plain values to plain values.
  - `tree`, `random_grid`: a parent tree and random dungeon levels whose rooms
    are always all connected.
  - `view`: screen layout, the camera between world and screen, and the state
    of the windows' menus.
  - `rng`, `prob`, `text`: the random draws (through `rand`) and string
    building the rest relies on.
- `tests/` runs the library on concrete values.
- `app/` is the program: the entity store (`hecs`), drawing and keyboard
  (`rltk`), and the loop that hands events to the library and applies what it
  decides. Run it with the argument `horse` for the steering walk.
