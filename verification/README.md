# creature_sim

An artificial-life simulation on a grid. Creatures carry genes; each gene
turns the chemical elements a creature holds into other elements, ejects
by-products onto the grid and may give birth to a copy of the creature.
Creatures burn one unit of their fundamental element at every step, head for
the elements their genes want, take in what lies at their cell, and die when
they starve, when a critical gene cannot run, or when they grow too small.

## Layout

- `src/` is the library, written in Verus and verified:
  - `element.rs`, `element_map.rs`: kinds of element, elements on the grid,
    and amounts by kind;
  - `gene.rs`: genes and the bytes they are hashed as;
  - `creature.rs`: creatures and their step (`Creature::produce`);
  - `step_model.rs`: a mathematical model of a step, against which the
    results of `produce` are stated;
  - `world.rs`: the grid, its reset and the merging of a step's results;
  - `utils.rs`, `config.rs`, `rng.rs`: neighbouring cells, parameters, and
    the random draws (macroquad's generator).
- `app/` is the program around it: the window, the drawing, the worker
  threads of a step, and the floating-point parts of the model (random genes,
  the coin flips of critical genes and the length of a move).
- `tests/` holds the tests of the library.
