# gdplanningai_rust

A goal-oriented action planner for game agents, with its planning logic
verified in Verus.

- `src/` is the verified library: snapshots of agent and world state, the
  requirement/provision and precondition specs, plan branches and their
  insertion bookkeeping, candidate discovery, the forward verification pass,
  goal transitions, termination policies, the debug search tree and its text,
  and the scheduler's decisions. Floating-point values (costs, rewards, float
  properties) are carried as IEEE-754 bit patterns; numeric comparisons are
  returned for the engine layer to settle.
- `app/` is the Godot extension around it: the GDScript-facing classes, value
  conversions, the thread-pool search loop (float costs and priorities),
  callable dispatch and log printing.
- `tests/` exercises the library on concrete values.
