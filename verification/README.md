# relayhop

RelayHop opens Discord through a short hop over Tor and then switches it to
the direct connection. This crate holds its verified core; `app/` holds the
program around it (window, tray, Tor worker, network and process I/O).

`src/`:

- `proxy`, `socks`, `address`, `netparse`, `router`: the local SOCKS5
  forwarder's destination policy, the SOCKS5 exchange on both ends, the DNS
  answer policy, the text form of socket addresses, and the forwarder's route
  choice and admission of clients.
- `tor`, `gateway`: the line protocol between the program and its Tor worker,
  and the check of Discord's gateway answer.
- `session`: the decisions taken while Discord runs, as a state machine.
- `discord`: Discord's launch arguments, process names and install versions.
- `tray`, `ui`, `icon`, `backend`, `startup`: what the window and the tray
  show, what their controls and a close request do, and the choices made at
  start-up.
- `text`: character-level helpers shared by the modules above.
