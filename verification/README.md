# dota_localization_changer

Renames heroes, skills and items in Dota 2 by rewriting the values of its
KeyValues localization file, with presets and a small settings file.

- `src/` is the library, verified with Verus:
  - `text.rs`: characters, white space, trimming, searching and replacing in strings;
  - `kvparser.rs`: the line grammar of a KeyValues file and the rewrite of its values;
  - `kvmap.rs`: the map of localization keys to new values;
  - `dotatypes.rs`: heroes, skills and items, and the tokens they produce;
  - `presets.rs`: preset names, file names and loading parsed presets;
  - `config.rs`: settings, the path of the game's localization archive, log levels;
  - `state.rs`: the editor's state and every operation the interface offers.
- `app/` is the program around it: the Qt interface, files, JSON, logging and
  the VPK archive.
- `tests/` runs the library on concrete values.
