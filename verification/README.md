# blemesh

Core of a Bluetooth LE mesh chat for Linux: every message floods over all
connections, with de-duplication. No encryption, no central server. The core is
verified with Verus; the program around it talks to BlueZ through `bluer`.

- `src/` is the verified library. `protocol` is the packet format, `seen` the
  memory of message ids, `mesh` the flood core. `address` and `peer_registry`
  decide who dials whom, `gatt_ids` finds the chat characteristic. `active` and
  `central` take the decisions of the dialling role, `peripheral` those of the
  accepting role, `pump` moves bytes between a link and the mesh, `chat` deals
  with names and typed lines.
- `app/` is the program: arguments, BlueZ, tasks and the terminal. It performs
  what the library decides and reports back what happened.
- `tests/` runs the library.

A node that receives a packet shows it if its id is new, and passes it on to
every other link with one hop less. Ids are remembered for five minutes from
their first arrival, and at most 2048 of them at a time. For any two nodes only
the one with the lower Bluetooth address dials out.

`Cargo.toml` names `dbus`, which no source file here uses, for its feature
`vendored`: `bluer` depends on that crate, which then builds the D-Bus C library
from source instead of looking for one on the system.
