# winshoweq

A map overlay for a multiplayer game, in two halves: a server that reads
the game's memory and answers a small binary protocol, and a client that
polls it, tracks spawns, ground items and respawn timers, and alerts on
filtered names.  The library in `src/` holds the logic of both halves with
its contracts proved by Verus; `app/` is a console front end around it.

Library modules:

- `text`, `bytes`: character and byte sequences (trimming, splitting,
  decimal and hexadecimal numbers, little-endian fields) with their specs.
- `protocol`, `network`, `status`: wire records, request handling and the
  server's status reporting.
- `scanner`, `scan_log`, `offsets`, `server_logic`, `mem_walk`, `wizard`,
  `debugger`, `memory`: finding offsets in the game executable, reading its
  report back, packing structures read from memory, walking the in-memory
  lists, the offset wizard and the offset console.
- `config`, `filters`, `filter_file`, `spawn_filter`, `spawns`, `stores`,
  `game_data`, `alerts`, `logger`: the client's configuration, name
  filters and their XML file, spawn and ground stores, game tables,
  alerts and log formatting.
- `timers`, `observer`, `timer_file`, `obs_file`, `annotation_file`,
  `map_text`: respawn timers, learning respawn intervals from what is
  observed, and the text files these are kept in.
- `client_tick`: one network tick of the client as a step function (each
  decoded record applied to the stores, then the respawn diff and the
  removal of spawns no longer sent), with file work handed back as actions.
- `scan_run`, `debug_walk`, `wizard_save`: the executable scan's
  searches and report, the offset console's spawn-list walk and its
  pointer and string searches, and the INI writes that save what the
  wizard and the scan found, as functions of what the caller read from
  the file or the process.

`tests/` exercises the library; `app/` reads and writes files, talks TCP,
parses floating-point text and drives the interactive consoles.

## Name-keyed tables

The filter set, the observer's pending kills and observations, and the
other tables keyed by text (game data, configuration, spawn filters) hold
their entries in a `Vec` of `(key, value)` pairs: a lookup finds the
first entry with the key and a put replaces it, so putting never makes a
key occur twice (`assoc` states and proves these operations; the filter
set has its own, with distinct names as its invariant).  A
`std::collections::HashMap<String, _>` was not used there: vstd specifies
its methods only under `obeys_key_model::<K>()`, which vstd states for the
integer types, `bool` and boxes of them, and not for `String`; with a
`String` key nothing about what the map holds could be proved.  The
association list also keeps the order in which keys first arrived, which
the saved files then follow.
