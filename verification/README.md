# Bioengineer

Bioengineer is a game: an AI lands a spaceship on a barren planet, builds machines around it,
cleans the air and grows trees until the planet holds life.

This crate holds the game's rules as a library verified with Verus:

- `world::world_map`: the map of cells, stored in chunks; its generation (island or noise
  heights), the iterator that walks and rebuilds it, which transformations a cell allows and
  which ones the rules forbid.
- `world::fluids`: the water that flows down, sideways and up between cells.
- `world::networks::network`: networks of machines, their material, capacity and power, and
  whether they stay connected.
- `world::networks`: the ship's network and the others; which network a machine joins, how
  networks merge and split, and the material spent and given back.
- `world::construction`: building a task's transformation cell by cell, as the rules of the map
  and the networks allow, and the queue of tasks.
- `world::frame`: the world as a whole and one frame of the game: settings, tasks, fluids,
  regeneration of the map, air cleaned, aging, goals and the frame count, in that order.
- `world` and `world::game_state`: tasks, aging of trees, goals, and on which frames each part
  of the world advances.
- `screen`: the state of the camera (levels shown, horizontal moves, highlighted cells), the
  decisions taken from the input and from the panels of the interface, and their texts.

`app/` is the game around the library: the window, drawing and input (macroquad), the command
line (clap), the terrain noise, and the loop that plays the library's frames.
