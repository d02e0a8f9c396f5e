# stalzone-server-blocker

Blocks game servers by address, by hand or at boot, and shows how fast each
server answers.

- `src/` is the verified library. `tunnels` reads and writes the tunnel list and
  `tunnel_laws` proves that a stored list reads back; `server` gives each entry its
  pool and region and orders the list; `ping` decides what a probe found; `app` and
  `operations` are the interactive program as a state machine, with `app_laws` on
  what holds across its operations; `commands` is what the command line prints;
  `systemd` plans changes to the unit.
- `app/` does the work outside: terminal, files, sockets, systemd. A program
  implements `Host` (firewall, stored settings, synchronisation, screens) and
  calls `run`.
- `tests/` runs the library on concrete values.

Two outside functions are trusted: the match of a line against the tunnel pattern
(`regex`), and `str::to_lowercase`.
