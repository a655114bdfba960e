# orexis

A relic exporter that runs inside Honkai: Star Rail. It records relics as the
game reports them, serves them to a companion app over a local WebSocket,
applies the character loadouts the app sends, and updates itself from GitHub
releases.

- `src/` is the library `orexis`, verified with Verus: how roll counts split
  into low/mid/high rolls, the relic and loadout records and their export
  form, the relic table, the routing of companion-app requests, the
  live-import events, the update decision and update script, picking the
  IL2CPP API table's instruction out of the byte-pattern matches (the byte
  scan itself is the `patternscan` crate's, taken on trust) and computing its
  address, and reading the game's dictionaries.
- `app/` is the DLL around it: the game bindings and hooks, the WebSocket
  server, HTTP downloads, notifications, and the JSON forms of the records.
  The game-facing parts build on Windows only.
- `tests/` exercises the library on concrete values.
