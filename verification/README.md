# libra

A general-purpose chat bot built on `serenity`. The command logic is a Verus
library under `src/`; `app/` connects to the chat service, reads the
settings and sends the replies the library computes.

- `collatz`: the Collatz step count command.
- `fun`: the Magic 8-Ball and the word scrambler.
- `general`: search links, the invite link, avatars and the about text.
- `permissions`: the permission bits of the invite link.
- `prefixes`: the per-server command prefixes and their JSON file.
- `servers`: the sorted server list.
- `text`: decimal numerals, number parsing and text order.
