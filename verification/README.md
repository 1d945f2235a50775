# pokemon_assistant

The logic of a desktop Pokemon lookup assistant, verified with Verus: the type
matchup of a Pokemon, the saved team and its current line-up, the validation of a
submitted team member, the caches of looked-up records, and the names, keys and
paths they are filed under.

- `src/` is the verified library:
  - `text.rs`: trimming, word splitting, name normalization, capitalization, the name order;
  - `paths.rs`: cache and data file paths (Unix-style, `/`-separated);
  - `model.rs`: the records and their models;
  - `matchup.rs`: the matchup computed from the damage relations of a Pokemon's types,
    and when it is computed and stored;
  - `team.rs`: saving, removing and selecting team members, with the team's consistency;
  - `entry_validation.rs`: validating a submitted member, one lookup at a time;
  - `lookup.rs`: lookup keys, messages, badges and the pages' records;
  - `api.rs`: PokeAPI's replies and the records built from them;
  - `cache.rs`: the in-memory cache, the age limit of cache files, the lookup order.
- `app/` holds the Tauri commands, the network calls, the files and the JSON shapes.
- `tests/` exercises the library on concrete values.
