# softmodem

The decisions of a software modem, verified: the command layer that a terminal
talks to, and the modulations below it as far as they are exact.

- `at`: command lines in, result codes and actions out.
- `framing`, `octets`, `bits`, `scrambling`, `carrier`: what the modulations share.
- `bell103`, `v22bis`, `v27ter`, `v29`, `v17`, `v32`: constellations, scramblers,
  differential and trellis coding, training sequences and handshakes.
- `v8`: which modulation two modems settle on.
- `v34`: the INFO sequences, the start-up from phase 2 to phase 4, and data mode.

Each module states what it computes over plain values: points are pairs of whole
numbers, levels are counted in fixed units, and time is counted in samples. The
properties that tie functions together are public proof functions, next to what
they are about; `v34::through` and `at::laws` hold those that span modules.

`app/` is the floating-point side: the loops that hand the library what the line
says and do what it decides, the conversions of samples and levels, and the
figures drawn on a screen. `tests/` runs both ends of a call against each other.
