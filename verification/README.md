# skirmish_script

The verified core of a fighting-game engine's fighter-script layer: the data
and rules that decide which script callback runs, when, and against which
state, with every function's behaviour stated as a Verus contract and proved.

`src/` is the library; each module states its model in spec functions and
proves its operations against it:

- `action`, `text`: native actions, their authoring spellings, and the text
  helpers the parsers rest on.
- `action_index`, `action_events`: the action event table (markers,
  countdowns, clocks, frame deadlines), its compilation and its schedules.
- `event_lowering`, `sidecars`: registration-time lowering of declarations
  into the table, and of command-trace and animation-mask resources into
  native rows.
- `callback_routing`, `dispatcher`, `events`: selectors that decide whether a
  binding takes a delivered event, the native subscription table, and the
  per-fighter event state (transitions, deadlines, gates).
- `definition`, `fighter_definition`, `fighter_registry`: fighter
  descriptors, their action lookups and callback ownership, and the registry
  of loaded fighters.
- `move_registry`, `selection`, `move_validation`, `async_move`: the move
  registry, move selection and validation of motion profiles.
- `host_state`, `state_validation`, `host_calls`, `native`, `builtins`,
  `float_bits`: script state values and schemas and their bounds, native
  values, host-call arguments, and the generic validation builtins with the
  requests they make of the host (binary32 and binary64 numbers are held as
  their encodings).
- `identity`, `motion`, `motion_links`, `articles`, `resource_paths`:
  identity records, motion track descriptors, native article tables and the
  grammar of projected resource paths.
- `air_operations`, `ground_operations`, `profile_plan`, `article_links`:
  the grammar of air and ground motion operations and of motion profiles in
  a motion manifest, which declared actions get motion profiles, in which
  order, and which entry answers for a native action, and the linking rules
  of article (projectile) resources.
- `lifecycle_calls`, `fighter_calls`, `fighter_writes`: the routing of a
  lifecycle callback's native calls and writes, the decoding of their
  arguments, and the move-ownership decision of an action change.

Laws that relate several operations are public proof functions named
`law_*`.

`app/` holds what stays outside the proofs: the binary32 stepping of action
countdowns and clocks, and the reading of JSON documents, manifest values
and event records into the library's records.  `tests/` exercises the library on concrete
values.
