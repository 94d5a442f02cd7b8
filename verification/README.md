# oxide_eda

The verified core of the Oxide EDA tools, written in Verus.

- `src/altium` — Altium Designer import: the Compound File Binary
  container, length-prefixed record streams, `KEY=VALUE` records and their
  conversion into schematic sheets, library symbols, footprints and boards.
  Coordinates are integer nanometres, angles thousandths of a degree.
- `src/ai` — circuit intents, real-part validation against a catalog, the
  generation prompt and MCP request routing.
- `src/cosim` — 12-state logic resolution, the FPGA bridge, session status.
- `src/compute` — the compute backend abstraction and its CPU backend.
- `src/engine` — multi-channel room matching by base designator.
- `src/server` — the library server's advisory locks, request checks, row
  and primitive stores and endpoint answers.
- `app/` — the HTTP server, file loading, and the floating-point analyses
  (clearance, congestion, thermal, FDTD, mixed-signal gateways, room
  geometry) around the library.
