# cs2_friendwatch

Watches selected Steam friends for a free Counter-Strike 2 lobby spot and
raises an alert, leaving the join to the user.

The decisions are a Verus-verified library under `src/`:

- `watcher` — presence classification, first joinable friend, join URIs,
  detail and debug lines, elapsed time, alert debouncing;
- `rich` — a friend's rich-presence keys and their sorted dump;
- `steam` — what is made of Steam's raw reads (values, friend list, polls);
- `friendwatch` — the watch queue and the watcher state machine;
- `notify`, `audio`, `config`, `bootstrap` — URIs, texts and settings values;
- `text`, `order` — strings, whitespace, decimal/hex, stable ordering.

`app/` is the program around it: Steamworks calls, the egui window, sound,
notifications, the settings file and the Steam runtime files.
