# kenkoterminal

The verified core of KenkoTerminal, a multi-protocol terminal (local shell,
SSH, serial, telnet) with a tray daemon that keeps port-forwards running and
reconnects them forever, a remote resource monitor, an SFTP file manager, a
serial debugger and fleet command execution.

- `src/` is the library, verified with Verus: the telnet IAC filter, the
  `~/.ssh/config` reader, the SOCKS5 exchange of dynamic forwards, the
  reconnect backoff, the monitor's output framing, the SFTP listing order,
  serial device re-discovery, saved-record bookkeeping, and the smaller
  decisions the sessions act on. `text.rs` holds the character-level
  helpers (Unicode whitespace, trimming, splitting, decimal numbers).
- `tests/` exercises the library on concrete values.
- `app/` is the Tauri application around it: windows and tray, the async
  runtime, sockets, serial ports, the keychain, HTTP and files.
