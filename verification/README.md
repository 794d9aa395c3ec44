# slime_rampage

A top-down dungeon crawler in which a slime fights its way down five floors.

- `src/` is the game's logic, written in Verus and proved against its
  contracts: the maze and room generator (`map`, `room`), movement, walls and
  collisions (`player`, `enemy`, `crateobj`, `projectile`, `collision`, `view`),
  what a frame of input does (`input`), the hits of a frame: sword, shots,
  barrels and shrapnel (`combat`), drops, coins, mana and hats (`game`,
  `enemy`, `player`, `menu`), the heads-up display and credits layout (`ui`,
  `credits`), and the properties that tie them together (`laws`). Positions
  and velocities are integers; velocities are kept in hundredths of a pixel
  per frame.
- `app/` is the program around it: the SDL window, textures, sound and input
  devices, the files that keep the blue gold and the hats, the floating-point
  push of crates by the player, and the main loop, which hands the library
  plain values and draws what it hands back.
- `tests/` runs the library on concrete values.

The one source of chance, a uniform draw from a range, comes from `rand`; every
contract that rests on it states what holds whatever was drawn.
