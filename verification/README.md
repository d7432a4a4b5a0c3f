# smudgy_ui

The logic of two windows of a MUD client, verified with Verus: the map editor and the
automations window.

- `src/map_editor_window/` — the editor. `model` and `cache` are what is cached of maps;
  `mutation`, `commands`, `compile` and `stack` are the undo history and how commands become
  batches of writes; `edits`, `links`, `creation`, `deletion`, `clipboard` and `paste` build
  commands. What is proved of undoing them is in `undoing`, `restoring`, `withdrawing` and
  `relinking`, over a model of rooms and drawings, in `reconnecting`, `disconnecting` and
  `unpasting`, over the model of exits and connections in `wiring`, and in `history`.
  `inspector/` is the form for what is selected. `area_list`, `shared_list`, `area_tree`,
  `area_plan`, `families`, `scopes` and `sharers` are the list of maps. `automatic_routing`
  says when a stored route is out of date. `window`, `hotkeys`,
  `navigation`, `dialogs`, `copies`, `folders` and `update` are the window itself: `update`
  takes a message and returns what is left to do.
- `src/automations_window/` — which stored values a script is handed (`state_values` and its
  parts), the browser for them (`browser`, `pickers`, `state_module`), the store inspector and
  the top bar.
- `src/list.rs`, `src/text.rs`, `src/words.rs` — lists and texts.
- `tests/` — scenarios on concrete values.
- `app/` — an editor that performs what the library asks for, over a host that draws, fetches
  and stores; the automations window over a runtime and the clock; and the measures in
  floating point that the library takes as arguments.

Positions and sizes are floats; the library carries them as bit patterns and takes what is
computed of them as arguments. Two functions of the standard library are used through
declarations in `text.rs`: `String::push` and `str::to_lowercase`.
