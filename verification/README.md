# rustboard

A soundboard that plays sounds into a voice-chat application through the
PipeWire audio graph, served over a small web page.

- `src/` is the verified library:
  - `stream.rs`: filling the buffers of a playback stream with 16-bit
    little-endian samples, and the cursor that walks through a sound;
  - `registry.rs`: what the player learns from the graph's registry (link
    factory, loopback and voice-chat nodes) and where a new stream goes;
  - `sounds.rs`: sound keys, which files are sounds, and the bank of sounds;
  - `text.rs`: character-level string equality, search and `u32` parsing.
- `app/` is the program around it: the web server, audio decoding and
  loudness normalisation, and the PipeWire main loop.
- `tests/` exercise the library on concrete values.
