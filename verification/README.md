# umm_core

The core of a multi-game mod manager, verified with Verus.

- `src/services/path_safety.rs`: which plugin-relative paths are safe, and joining them onto a root.
- `src/services/plugin_manager.rs`: discovered plugins, the active plugin, and validation of the
  game metadata a plugin declares.
- `src/services/mod_manager.rs`, `src/services/mod_discovery.rs`: recognising mods in a game
  folder, their saved state, toggling, reordering and the stable priority order.
- `src/services/theme_manager.rs`: CSS themes and the active theme.
- `src/models/`: the data exchanged with the front end and the plugins; `config.rs` holds the
  settings and their migration from the older `game_paths` setting.
- `src/commands/mods.rs`: the load order handed to a plugin and where its files may be written.
- `src/plugins/`: the logic of the bundled security-test and Witcher 3 plugins.
- `app/`: file system, JSON, the WASM plugin runtime (extism) and the front end's commands.
