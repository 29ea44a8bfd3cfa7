# lorawanwiz

A LoRaWAN modulation visualizer whose byte-level core is verified with Verus.

- `src/` is the verified library: the A_i and B_0 blocks, FRMPayload
  encryption (AES-128 in LoRaWAN's counter construction), the CMAC-based MIC,
  frame assembly, SF-bit symbol packing, Gray coding, the labeled symbol
  stream, hex parsing and formatting, the input-editing rules of the UI and the
  text helpers of the Typst export. AES-128 and CMAC come from the `aes` and
  `cmac` crates through two trusted wrappers in `src/crypto.rs`; everything
  else is proved against its contract, and the laws (Gray round trip,
  encryption is its own inverse, frame layout, symbols fit in SF bits, hex
  round trip, escaping round trip, ...) are public proof functions.
- `tests/` runs the library on concrete values.
- `app/` is the Bevy application around it: windowing, UI widgets, chirp
  waveforms and audio (floating point), file dialogs, RON persistence.
