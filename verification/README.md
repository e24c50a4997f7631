# losig

Lost-Signal is a small multiplayer roguelike about perception and time: each
player spends focus on senses (self, touch, hearing, sight) to learn what
surrounds its avatar, and players share stages whose history is replayed when a
player behind the others commands its avatar.

The library in `src/` holds the rules, verified with Verus:

- `types`, `sense`, `events`: the vocabulary (positions, tiles, avatars, foes,
  senses and what they perceive, game events);
- `stage`, `action`, `foes`, `bounds`, `gather`, `stage_events`, `fov`: a stage
  and its timeline, the avatars' actions, the foes' behaviour, the bounds that
  what players witnessed puts on the past, the senses and the field of view;
- `world`, `game`, `leaderboard`, `network`: the stages of a game, the players,
  and the answers to their messages;
- `tiled_map`: the maps drawn with Tiled, turned into stages;
- `client_world`, `logs`, `client`, `pages`: what a client knows of the world,
  its logs, and what the player's keys do.

`app/` is the server: it reads the maps, listens to the players over websockets
and hands their messages to the library. `tests/` runs the library on examples.
