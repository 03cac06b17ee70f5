# keymachines

Keyboard remapping as a pipeline of small state machines, verified with Verus.

- `src/common.rs`: the events that flow through a pipeline and their views.
- `src/machines/`: the `Runnable` trait and the context machines emit into
  (`mod.rs`), key maps over `bitmaps` (`key_maps.rs`), the hosting machine
  that masks keys (`machine.rs`), the runner that chains machines, spawns
  and drops them (`runner.rs`), and the machine bodies (mode, lead, big,
  dynamic, print-keys, and `stage.rs` to hold any of them).
- `src/input.rs`: what the device loop does with each read and what it
  writes for each emitted item.
- `src/sink.rs`: a sink trait and its `VecDeque` implementation.
- `app/`: the program: grabs an evdev keyboard, runs the pipeline, writes to
  a virtual keyboard, prints the key displays.

Each machine describes itself by spec functions over its view (`next`,
`emitted`, `accepts`, `rank`, `spawned`); `run` is proved against them, and
the runner's own contract is stated over the machines' descriptions.
`stage.rs` also proves that a runner of stage machines accepts every event
whose key code the key maps hold, so the program checks only the code.
