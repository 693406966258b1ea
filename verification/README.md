# drover_proxy

Decision logic of a proxy DLL for an Electron desktop client, verified with Verus.

- `src/config.rs`: the configuration model and the PAC script built from it.
- `src/launch.rs`: the command line that carries the PAC script as a `data:` URL.
- `src/state.rs`: per-socket state in a `dashmap` table.
- `src/tcp_proxy.rs`: turning an HTTP `CONNECT` into a SOCKS5 handshake, as a
  step function the caller drives with the results of its socket calls.
- `src/udp_bypass.rs`: the decoy datagrams sent before the first voice packet.
- `src/installer.rs`: the installer's configuration text and folder choice.
- `src/text.rs`: character-sequence helpers.
- `app/`: the Windows side (detours, Winsock calls, file reading, `DllMain`,
  the interactive installer); it builds only for Windows targets.
