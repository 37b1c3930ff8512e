# mwi_sim_core

The verified core of a Milky Way Idle combat simulator, written in Verus.

`src/` is the library, every function of it checked by Verus against its
contract:

- `time`, `float_bits`, `whole`: simulation time and binary64 values held as
  bit patterns, with the predicates the validators need;
- `rng`: the seeded Mulberry32 generator (FNV-1a over the seed's UTF-16 code
  units) and explicit random sequences;
- `event_queue`: the stable event queue (earliest time first, scheduling
  order among equal times, lazy cancellation by handle);
- `json`, `contracts`: JSON values and the versioned simulation request with
  its validation;
- `combat_data`, `ability_data`, `basic_data`: the game-data snapshots and
  their validation; `auto_attack_capabilities` and `ability_data` also
  classify zones and abilities for the engines;
- `combat_scope`, `player`, `combat_result`: what the combat engines accept,
  their random source, and the tallies of their results.

`app/` is the command-line program around the library: JSON reading and
writing, the game-data files, and the two combat engines, whose arithmetic
is floating point. `tests/` exercises the library.
