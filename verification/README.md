# wsrx_desktop

The verified core of the WebSocket Reflector X desktop daemon and its system tray.

- `src/text.rs` — character-level text: equality, Unicode whitespace trimming,
  splitting at commas and joining with commas, with the laws that connect them.
- `src/tray.rs` — menu layout and labels per UI language, the slot that holds the
  live tray icon and the laws over its history, routing of menu and icon events, and decoding the tray icon's pixels
  (through the `image` crate).
- `src/daemon.rs` — proxy instances and scopes as shown and persisted, restoring
  instances on launch, the API server's address, the crypto-backend fallback and
  default instance labels (numbers drawn through `rand`).
- `app/` — the edges: configuration files on disk (`serde`, `toml`,
  `serde_json`, `directories`), the API server's listener and port file
  (`tokio`), and installing the TLS crypto backend (`rustls`).

The driver of the desktop application — its window and callbacks, the tray
icon, the API routes and restoring proxy tunnels — is not part of this crate:
it needs the application's generated UI module and its model and controller
modules, built on `slint`, `tray-icon`, `axum`, `reqwest` and the project's own
`wsrx` crate.  The library's tray and restore decisions are written for it.
