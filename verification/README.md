# howlingwind

The netplay launcher for Naruto GNT4 on the Dolphin emulator: rollback
netplay over UDP, the text protocol of the patched emulator's control server,
STUN discovery and hole punching, controller and cheat configuration files,
and self-updates.

- `src/` is the library, verified with Verus: packet formats and their
  round trips, the input buffer with its prediction and confirmation rules,
  the rollback engine's decisions, match and set tracking, the control
  server's replies, STUN message parsing, the emulator's configuration
  files (reading and writing controller sections), version comparison and
  the update script. Each public function states its result in its
  contract; the laws that span several functions are public proof
  functions.
- `tests/` exercises the library on concrete values.
- `app/` is the command-line program around it: files, sockets, the
  control-server connection, HTTP downloads, the game loop that performs
  what the library decides, and, on Windows, the emulator's process memory
  and XInput pads.
