# powerchecker

Verified core of PowerChecker, a system that shows a home's electricity use:
a server reads the smart meter (through Home Assistant or a BP35C2 Wi-SUN
module) and a SwitchBot thermometer, and an M5Stack display client shows the
power, a clock and a photo slideshow.

- `src/` — the library, verified with Verus: power levels, calendar arithmetic,
  history ranges, the BP35C2 text protocol and serial framing, the client's
  HTTP/JSON/NTP handling and its waits and deadlines, BMP decoding and the image catalogue, SwitchBot
  request signing, and the display loop's decisions and texts.
- `tests/` — tests of the library on concrete values.
- `app/` — the server program (Tokio, Axum, reqwest, SQLite, serial port) and
  the client's loop over an abstract board; it does the I/O and calls the
  library for every decision.
