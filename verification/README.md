# radiochron

Wi-Fi diagnostics with proofs: 802.11 beacon analysis, connection-history
verdicts, connectivity diagnosis and a change-only chronicle of what the radio
does. The library is written in Verus, and its contracts are proved.

- `src/` is the library. It decides and computes; it opens no file, socket or
  device.
  - `wlan` – interfaces, beacons and their information elements, sampling runs
  - `link` – the state machine that turns polls of a link into changes
  - `chronicle` – entries, sinks, the recorder, the JSON Lines journal and the
    tail of the event log
  - `events` – the WLAN event log: decoding and the history verdict
  - `connectivity` – which probes to run, and what their outcomes mean
  - `embedded`, `esp_idf` – the chronicle and its metrics for firmware
  - `mcp` – the Model Context Protocol surface
  - `time`, `schema`, `text`, `scan`, `ordered`, `sorting`, `num`, `json` – what
    the others stand on
- `tests/` runs the compiled library.
- `app/` is the program around it: native collectors, files, sockets, streams
  and the serialised forms.

What is believed and not proved is little and marked in the source: the calls
into `serde_json` and `enumset`, and a handful into the standard library (clocks,
text decoding, Unicode lower case, the wording of number errors). Each stands in
a function of its own, whose comment says what is claimed of it.

The laws are the public proof functions. Among them: a stable link is recorded
once; a failure to observe is no disconnect; event keys are unambiguous; calendar
dates round-trip, and later times have later timestamps; rotation caps the files of a journal, and what was written to
it is read back; the order of events does not change a verdict, as long as those
of one second keep theirs; nothing of the event log is recorded twice; only listed tools run, and every answer carries the
id of its request.
