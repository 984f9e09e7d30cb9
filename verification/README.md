# rusty_radio

The core logic of an embedded internet radio, written in Verus and proved
against its contracts.

## Layout

- `src/` — the verified library:
  - `stations` — the station list in a fixed byte pool, preset slots, and
    loading from CSV (fields read with `csv-core`);
  - `m3u` — the byte-at-a-time scanner that finds the first stream URL in a
    playlist;
  - `http_request`, `http_response` — the request builder with fixed byte
    budgets, and the response head (parsed with `httparse`);
  - `stream` — the decisions of the streaming task: the request for a station
    URL (split with `nourl`), where a response leads, playlist handling, and
    when buffered audio starts playing;
  - `protocol` — the UART protocol to the radio processor: command frames out
    (numbers written with `itoa`), replies read a byte at a time;
  - `mcp23s17` — the I/O expander's register logic as plans of register
    accesses;
  - `front_panel` — button and rotary-encoder decoding, and the panel's
    expander configuration;
  - `tuner` — the tuning dial, presets, and the tuner's decisions per poll;
  - `devices`, `text` — small device handles and text helpers.
- `tests/` — tests of the library on concrete values.
- `app/` — the I/O around the library: the serial link, the SPI expander and
  front panel, the audio stream over TCP, the tuner's polling loop and a
  delay on the embassy timer.

Each law of the library is a public proof function next to the functions it
speaks of.
