# tsumiki

A 3D sandbox game set in a voxel-based world: the client, its protocol and its
connections.

- `src/` is the library: what the game decides, verified with Verus. Every
  function states in its contract what it returns or changes; the proof
  functions whose names start with `law_` state what holds of several of them
  together.
- `tests/` runs the library on concrete values.
- `app/` is the client program around it: windows, input, drawing, files and
  sockets, with Bevy, renet and serde. The launcher hands it the world's
  registries and physics (`app/rules.rs`) and the ways to reach a server
  (`MenuHooks`).
  The program needs Bevy 0.19 beside what `Cargo.toml` names, which is what the
  library and its tests need and the crates for sockets and files.

## The library

| Modules | What they hold |
| --- | --- |
| `geometry`, `chunk`, `blocks`, `item`, `bits` | positions, chunks of blocks and light, the registries, real numbers as bit patterns |
| `packed`, `nearest`, `lists` | maps and sets keyed by position, picking what is nearest, facts about sequences |
| `greedy`, `mesh` | chunk meshes: which faces are seen, merged into rectangles |
| `view`, `lod_view` | the chunks around the camera, near and far: what to request, mesh and forget |
| `protocol`, `channels`, `local`, `net_client`, `net_server` | the messages, and the links that carry them |
| `session`, `state`, `remote` | what arrives from the server, and what becomes of it |
| `camera`, `damage`, `interact`, `hotbar`, `health` | the player: movement, harm, mining and placing |
| `inventory`, `factory`, `icons` | slots, recipes, machines, item icons |
| `menu`, `worlds`, `names`, `pause`, `settings`, `screenshot` | the screens around the game |
| `i18n`, `text` | texts in the player's language |

Lengths are in blocks, mesh positions in hundredths of a block, times in
nanoseconds. A real number that is only carried, compared or clamped is held as
its bit pattern; what computes on real numbers stands in `app/`.
